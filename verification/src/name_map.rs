//! A map from names to values that keeps its entries in increasing order of
//! their keys, so that walking it visits keys in sorted order.
use vstd::prelude::*;
use crate::text::{str_lt, str_less, str_equal};

verus! {

/// `str_lt` never holds of equal sequences.
pub proof fn lemma_str_lt_irreflexive(a: Seq<char>)
    ensures
        !str_lt(a, a),
    decreases a.len(),
{
    if a.len() > 0 {
        lemma_str_lt_irreflexive(a.drop_first());
    }
}

/// `str_lt` is transitive.
pub proof fn lemma_str_lt_transitive(a: Seq<char>, b: Seq<char>, c: Seq<char>)
    requires
        str_lt(a, b),
        str_lt(b, c),
    ensures
        str_lt(a, c),
    decreases a.len(),
{
    if a.len() > 0 && b.len() > 0 && c.len() > 0 {
        if a[0] == b[0] && b[0] == c[0] {
            lemma_str_lt_transitive(a.drop_first(), b.drop_first(), c.drop_first());
        }
    }
}

/// Two sequences are equal or one is below the other.
pub proof fn lemma_str_lt_total(a: Seq<char>, b: Seq<char>)
    ensures
        a == b || str_lt(a, b) || str_lt(b, a),
    decreases a.len(),
{
    if a.len() > 0 && b.len() > 0 && a[0] == b[0] {
        lemma_str_lt_total(a.drop_first(), b.drop_first());
        if a.drop_first() == b.drop_first() {
            assert(a =~= seq![a[0]] + a.drop_first());
            assert(b =~= seq![b[0]] + b.drop_first());
        }
    } else if a.len() == 0 && b.len() == 0 {
        assert(a =~= b);
    } else if a.len() > 0 && b.len() > 0 {
        assert(a[0] != b[0]);
    }
}

/// `str_lt` is asymmetric.
pub proof fn lemma_str_lt_asymmetric(a: Seq<char>, b: Seq<char>)
    requires
        str_lt(a, b),
    ensures
        !str_lt(b, a),
{
    if str_lt(b, a) {
        lemma_str_lt_transitive(a, b, a);
        lemma_str_lt_irreflexive(a);
    }
}

/// The keys of an entry list, in order.
pub open spec fn keys_of<V>(s: Seq<(Seq<char>, V)>) -> Seq<Seq<char>> {
    s.map_values(|e: (Seq<char>, V)| e.0)
}

/// Entries are in strictly increasing order of their keys.
pub open spec fn keys_sorted<V>(s: Seq<(Seq<char>, V)>) -> bool {
    forall|i: int, j: int| 0 <= i < j < s.len() ==> str_lt(#[trigger] s[i].0, #[trigger] s[j].0)
}

/// Whether some entry has key `k`.
pub open spec fn has_key<V>(s: Seq<(Seq<char>, V)>, k: Seq<char>) -> bool {
    exists|i: int| 0 <= i < s.len() && #[trigger] s[i].0 == k
}

/// The value stored under `k`, if any (the first such entry).
pub open spec fn lookup<V>(s: Seq<(Seq<char>, V)>, k: Seq<char>) -> Option<V>
    decreases s.len(),
{
    if s.len() == 0 {
        None
    } else if s[0].0 == k {
        Some(s[0].1)
    } else {
        lookup(s.drop_first(), k)
    }
}

/// Inserting `(k, v)` before the first entry whose key is above `k`.
pub open spec fn sorted_insert<V>(s: Seq<(Seq<char>, V)>, k: Seq<char>, v: V) -> Seq<(Seq<char>, V)>
    decreases s.len(),
{
    if s.len() == 0 {
        seq![(k, v)]
    } else if str_lt(k, s[0].0) {
        seq![(k, v)] + s
    } else {
        seq![s[0]] + sorted_insert(s.drop_first(), k, v)
    }
}

/// The position at which `sorted_insert` places a key.
pub open spec fn insert_position<V>(s: Seq<(Seq<char>, V)>, k: Seq<char>) -> int
    decreases s.len(),
{
    if s.len() == 0 {
        0
    } else if str_lt(k, s[0].0) {
        0
    } else {
        1 + insert_position(s.drop_first(), k)
    }
}

proof fn lemma_insert_position<V>(s: Seq<(Seq<char>, V)>, k: Seq<char>, v: V)
    ensures
        0 <= insert_position(s, k) <= s.len(),
        sorted_insert(s, k, v) == s.insert(insert_position(s, k), (k, v)),
        forall|i: int| 0 <= i < insert_position(s, k) ==> !str_lt(k, #[trigger] s[i].0),
        insert_position(s, k) < s.len() ==> str_lt(k, s[insert_position(s, k)].0),
    decreases s.len(),
{
    if s.len() == 0 {
        assert(s.insert(0, (k, v)) =~= seq![(k, v)]);
    } else if str_lt(k, s[0].0) {
        assert(s.insert(0, (k, v)) =~= seq![(k, v)] + s);
    } else {
        lemma_insert_position(s.drop_first(), k, v);
        let p = insert_position(s.drop_first(), k);
        assert(s.insert(p + 1, (k, v)) =~= seq![s[0]] + s.drop_first().insert(p, (k, v)));
        assert forall|i: int| 0 <= i < p + 1 implies !str_lt(k, #[trigger] s[i].0) by {
            if i > 0 {
                assert(s[i] == s.drop_first()[i - 1]);
            }
        }
    }
}

/// Inserting a new key into sorted entries keeps them sorted, adds exactly
/// that key, and keeps every other entry.
pub proof fn lemma_sorted_insert<V>(s: Seq<(Seq<char>, V)>, k: Seq<char>, v: V)
    requires
        keys_sorted(s),
        !has_key(s, k),
    ensures
        keys_sorted(sorted_insert(s, k, v)),
        sorted_insert(s, k, v).len() == s.len() + 1,
        forall|q: Seq<char>| has_key(sorted_insert(s, k, v), q) <==> (has_key(s, q) || q == k),
        lookup(sorted_insert(s, k, v), k) == Some(v),
        forall|q: Seq<char>| q != k ==> lookup(sorted_insert(s, k, v), q) == lookup(s, q),
{
    lemma_insert_position(s, k, v);
    let p = insert_position(s, k);
    let r = sorted_insert(s, k, v);
    assert(r == s.insert(p, (k, v)));
    assert forall|i: int, j: int| 0 <= i < j < r.len() implies str_lt(
        #[trigger] r[i].0,
        #[trigger] r[j].0,
    ) by {
        if j < p {
            assert(r[i] == s[i] && r[j] == s[j]);
        } else if j == p {
            assert(r[i] == s[i]);
            assert(!str_lt(k, s[i].0));
            lemma_str_lt_total(k, s[i].0);
        } else if i < p {
            assert(r[i] == s[i] && r[j] == s[j - 1]);
            if i < j - 1 {
            }
        } else if i == p {
            assert(r[j] == s[j - 1]);
            if j - 1 > p {
                lemma_str_lt_transitive(k, s[p].0, s[j - 1].0);
            }
        } else {
            assert(r[i] == s[i - 1] && r[j] == s[j - 1]);
        }
    }
    assert forall|q: Seq<char>| has_key(r, q) <==> (has_key(s, q) || q == k) by {
        if has_key(r, q) {
            let i = choose|i: int| 0 <= i < r.len() && #[trigger] r[i].0 == q;
            if i < p {
                assert(s[i].0 == q);
            } else if i > p {
                assert(s[i - 1].0 == q);
            }
        }
        if has_key(s, q) {
            let i = choose|i: int| 0 <= i < s.len() && #[trigger] s[i].0 == q;
            if i < p {
                assert(r[i].0 == q);
            } else {
                assert(r[i + 1].0 == q);
            }
        }
        if q == k {
            assert(r[p].0 == q);
        }
    }
    lemma_lookup_unique(r, k, p);
    assert forall|q: Seq<char>| q != k implies lookup(r, q) == lookup(s, q) by {
        lemma_lookup_insert_other(s, k, v, q, p);
    }
}

/// Every entry after an insertion is the new entry or an old one.
pub proof fn lemma_sorted_insert_entries<V>(s: Seq<(Seq<char>, V)>, k: Seq<char>, v: V)
    ensures
        forall|j: int|
            0 <= j < sorted_insert(s, k, v).len() ==> #[trigger] sorted_insert(s, k, v)[j] == (k, v)
                || exists|m: int| 0 <= m < s.len() && sorted_insert(s, k, v)[j] == s[m],
        sorted_insert(s, k, v).len() == s.len() + 1,
{
    lemma_insert_position(s, k, v);
    let p = insert_position(s, k);
    assert forall|j: int| 0 <= j < sorted_insert(s, k, v).len() implies #[trigger] sorted_insert(s, k, v)[j] == (k, v)
        || exists|m: int| 0 <= m < s.len() && sorted_insert(s, k, v)[j] == s[m] by {
        if j < p {
            assert(sorted_insert(s, k, v)[j] == s[j]);
        } else if j > p {
            assert(sorted_insert(s, k, v)[j] == s[j - 1]);
        }
    }
}

/// Every entry before an insertion is still there after it.
pub proof fn lemma_sorted_insert_keeps<V>(s: Seq<(Seq<char>, V)>, k: Seq<char>, v: V)
    ensures
        forall|m: int| 0 <= m < s.len() ==> exists|j: int| 0 <= j < sorted_insert(s, k, v).len() && #[trigger] s[m] == sorted_insert(s, k, v)[j],
        has_key(sorted_insert(s, k, v), k),
{
    lemma_insert_position(s, k, v);
    let p = insert_position(s, k);
    let r = sorted_insert(s, k, v);
    assert forall|m: int| 0 <= m < s.len() implies exists|j: int| 0 <= j < r.len() && #[trigger] s[m] == r[j] by {
        if m < p {
            assert(r[m] == s[m]);
        } else {
            assert(r[m + 1] == s[m]);
        }
    }
    assert(r[p].0 == k);
}

/// Inserting a key above every present key appends it.
pub proof fn lemma_sorted_insert_append<V>(s: Seq<(Seq<char>, V)>, k: Seq<char>, v: V)
    requires
        forall|j: int| 0 <= j < s.len() ==> str_lt(#[trigger] s[j].0, k),
    ensures
        sorted_insert(s, k, v) == s.push((k, v)),
        !has_key(s, k),
    decreases s.len(),
{
    lemma_str_lt_irreflexive(k);
    if s.len() > 0 {
        lemma_str_lt_asymmetric(s[0].0, k);
        assert forall|j: int| 0 <= j < s.drop_first().len() implies str_lt(#[trigger] s.drop_first()[j].0, k) by {
            assert(s.drop_first()[j] == s[j + 1]);
        }
        lemma_sorted_insert_append(s.drop_first(), k, v);
        assert(seq![s[0]] + s.drop_first().push((k, v)) =~= s.push((k, v)));
    } else {
        assert(seq![(k, v)] =~= s.push((k, v)));
    }
}

/// Inserting the same key into two entry lists with the same keys keeps them
/// in step: same keys, and related values at each position.
pub proof fn lemma_insert_related<A, B>(
    a: Seq<(Seq<char>, A)>,
    b: Seq<(Seq<char>, B)>,
    k: Seq<char>,
    va: A,
    vb: B,
    rel: spec_fn(A, B) -> bool,
)
    requires
        a.len() == b.len(),
        forall|i: int| 0 <= i < a.len() ==> (#[trigger] a[i]).0 == b[i].0 && rel(a[i].1, b[i].1),
        rel(va, vb),
    ensures
        sorted_insert(a, k, va).len() == sorted_insert(b, k, vb).len(),
        forall|i: int| 0 <= i < sorted_insert(a, k, va).len() ==> (#[trigger] sorted_insert(a, k, va)[i]).0
            == sorted_insert(b, k, vb)[i].0 && rel(sorted_insert(a, k, va)[i].1, sorted_insert(b, k, vb)[i].1),
{
    lemma_insert_position(a, k, va);
    lemma_insert_position(b, k, vb);
    lemma_insert_position_same(a, b, k);
    let p = insert_position(a, k);
    let ra = sorted_insert(a, k, va);
    let rb = sorted_insert(b, k, vb);
    assert forall|i: int| 0 <= i < ra.len() implies (#[trigger] ra[i]).0 == rb[i].0 && rel(ra[i].1, rb[i].1) by {
        if i < p {
            assert(ra[i] == a[i] && rb[i] == b[i]);
        } else if i > p {
            assert(ra[i] == a[i - 1] && rb[i] == b[i - 1]);
        }
    }
}

proof fn lemma_insert_position_same<A, B>(a: Seq<(Seq<char>, A)>, b: Seq<(Seq<char>, B)>, k: Seq<char>)
    requires
        a.len() == b.len(),
        forall|i: int| 0 <= i < a.len() ==> (#[trigger] a[i]).0 == b[i].0,
    ensures
        insert_position(a, k) == insert_position(b, k),
    decreases a.len(),
{
    if a.len() > 0 {
        assert(a[0].0 == b[0].0);
        assert forall|i: int| 0 <= i < a.drop_first().len() implies (#[trigger] a.drop_first()[i]).0
            == b.drop_first()[i].0 by {
            assert(a.drop_first()[i] == a[i + 1]);
            assert(b.drop_first()[i] == b[i + 1]);
        }
        lemma_insert_position_same(a.drop_first(), b.drop_first(), k);
    }
}

/// Entry lists with the same keys agree on which keys they hold.
pub proof fn lemma_same_keys_has_key<A, B>(a: Seq<(Seq<char>, A)>, b: Seq<(Seq<char>, B)>, k: Seq<char>)
    requires
        a.len() == b.len(),
        forall|i: int| 0 <= i < a.len() ==> (#[trigger] a[i]).0 == b[i].0,
    ensures
        has_key(a, k) == has_key(b, k),
{
    if has_key(a, k) {
        let i = choose|i: int| 0 <= i < a.len() && #[trigger] a[i].0 == k;
        assert(b[i].0 == k);
    }
    if has_key(b, k) {
        let i = choose|i: int| 0 <= i < b.len() && #[trigger] b[i].0 == k;
        assert(a[i].0 == k);
    }
}

/// In sorted entries, the lookup of the key at position `i` is its value.
pub proof fn lemma_lookup_unique<V>(s: Seq<(Seq<char>, V)>, k: Seq<char>, i: int)
    requires
        keys_sorted(s),
        0 <= i < s.len(),
        s[i].0 == k,
    ensures
        lookup(s, k) == Some(s[i].1),
    decreases s.len(),
{
    if i == 0 {
    } else {
        assert(str_lt(s[0].0, s[i].0));
        lemma_str_lt_irreflexive(k);
        assert(s.drop_first()[i - 1] == s[i]);
        assert(keys_sorted(s.drop_first())) by {
            assert forall|a: int, b: int| 0 <= a < b < s.drop_first().len() implies str_lt(
                #[trigger] s.drop_first()[a].0,
                #[trigger] s.drop_first()[b].0,
            ) by {
                assert(s.drop_first()[a] == s[a + 1]);
                assert(s.drop_first()[b] == s[b + 1]);
            }
        }
        lemma_lookup_unique(s.drop_first(), k, i - 1);
    }
}

/// Lookup finds nothing for an absent key.
pub proof fn lemma_lookup_absent<V>(s: Seq<(Seq<char>, V)>, k: Seq<char>)
    requires
        !has_key(s, k),
    ensures
        lookup(s, k) is None,
    decreases s.len(),
{
    if s.len() > 0 {
        assert(s[0].0 != k);
        assert(!has_key(s.drop_first(), k)) by {
            if has_key(s.drop_first(), k) {
                let i = choose|i: int| 0 <= i < s.drop_first().len() && #[trigger] s.drop_first()[i].0 == k;
                assert(s[i + 1].0 == k);
            }
        }
        lemma_lookup_absent(s.drop_first(), k);
    }
}

/// Lookup finds the key when it is present.
pub proof fn lemma_lookup_present<V>(s: Seq<(Seq<char>, V)>, k: Seq<char>)
    requires
        has_key(s, k),
    ensures
        lookup(s, k) is Some,
    decreases s.len(),
{
    if s[0].0 != k {
        let i = choose|i: int| 0 <= i < s.len() && #[trigger] s[i].0 == k;
        assert(s.drop_first()[i - 1].0 == k);
        lemma_lookup_present(s.drop_first(), k);
    }
}

proof fn lemma_lookup_insert_other<V>(s: Seq<(Seq<char>, V)>, k: Seq<char>, v: V, q: Seq<char>, p: int)
    requires
        0 <= p <= s.len(),
        q != k,
    ensures
        lookup(s.insert(p, (k, v)), q) == lookup(s, q),
    decreases s.len(),
{
    if p == 0 {
        assert(s.insert(0, (k, v)).drop_first() =~= s);
    } else {
        assert(s.insert(p, (k, v)).drop_first() =~= s.drop_first().insert(p - 1, (k, v)));
        lemma_lookup_insert_other(s.drop_first(), k, v, q, p - 1);
    }
}

proof fn lemma_map_insert<V>(es: Seq<(String, V)>, p: int, key: String, value: V)
    requires
        0 <= p <= es.len(),
    ensures
        es.insert(p, (key, value)).map_values(|e: (String, V)| (e.0@, e.1))
            == es.map_values(|e: (String, V)| (e.0@, e.1)).insert(p, (key@, value)),
{
    assert(es.insert(p, (key, value)).map_values(|e: (String, V)| (e.0@, e.1))
        =~= es.map_values(|e: (String, V)| (e.0@, e.1)).insert(p, (key@, value)));
}

/// A map from names to values, with keys kept in increasing order.
#[derive(Debug, PartialEq)]
pub struct NameMap<V> {
    entries: Vec<(String, V)>,
}

impl<V> View for NameMap<V> {
    type V = Seq<(Seq<char>, V)>;

    closed spec fn view(&self) -> Seq<(Seq<char>, V)> {
        self.entries@.map_values(|e: (String, V)| (e.0@, e.1))
    }
}

impl<V> NameMap<V> {
    #[verifier::type_invariant]
    spec fn inv(self) -> bool {
        keys_sorted(self@)
    }

    /// An empty map.
    pub fn new() -> (r: Self)
        ensures
            r@ == Seq::<(Seq<char>, V)>::empty(),
    {
        let r = NameMap { entries: Vec::new() };
        assert(r@ =~= Seq::<(Seq<char>, V)>::empty());
        r
    }

    /// The number of entries.
    pub fn len(&self) -> (r: usize)
        ensures
            r == self@.len(),
            keys_sorted(self@),
    {
        proof {
            use_type_invariant(self);
        }
        self.entries.len()
    }

    /// Whether the map has no entry.
    pub fn is_empty(&self) -> (r: bool)
        ensures
            r == (self@.len() == 0),
    {
        self.entries.len() == 0
    }

    /// The key and value at position `i`.
    pub fn entry(&self, i: usize) -> (r: (&String, &V))
        requires
            i < self@.len(),
        ensures
            r.0@ == self@[i as int].0,
            *r.1 == self@[i as int].1,
    {
        let e = &self.entries[i];
        (&e.0, &e.1)
    }

    /// The value at position `i`.
    pub fn value_at(&self, i: usize) -> (r: &V)
        requires
            i < self@.len(),
        ensures
            *r == self@[i as int].1,
    {
        &self.entries[i].1
    }

    /// The key at position `i`.
    pub fn key_at(&self, i: usize) -> (r: &String)
        requires
            i < self@.len(),
        ensures
            r@ == self@[i as int].0,
    {
        &self.entries[i].0
    }

    /// The position of `key`, if present.
    pub fn position(&self, key: &str) -> (r: Option<usize>)
        ensures
            r matches Some(i) ==> i < self@.len() && self@[i as int].0 == key@,
            r is None ==> !has_key(self@, key@),
    {
        let mut i: usize = 0;
        while i < self.entries.len()
            invariant
                i <= self@.len(),
                self@.len() == self.entries@.len(),
                forall|j: int| 0 <= j < i ==> self@[j].0 != key@,
            decreases self@.len() - i,
        {
            if str_equal(self.entries[i].0.as_str(), key) {
                return Some(i);
            }
            i = i + 1;
        }
        None
    }

    /// Whether some entry has key `key`.
    pub fn contains_key(&self, key: &str) -> (r: bool)
        ensures
            r == has_key(self@, key@),
    {
        self.position(key).is_some()
    }

    /// The value stored under `key`.
    pub fn get(&self, key: &str) -> (r: Option<&V>)
        ensures
            r matches Some(v) ==> lookup(self@, key@) == Some(*v),
            r is None ==> lookup(self@, key@) is None,
    {
        proof {
            use_type_invariant(self);
        }
        match self.position(key) {
            Some(i) => {
                proof {
                    lemma_lookup_unique(self@, key@, i as int);
                }
                Some(&self.entries[i].1)
            },
            None => {
                proof {
                    lemma_lookup_absent(self@, key@);
                }
                None
            },
        }
    }

    /// Adds an entry under a key that is not yet present, at its sorted
    /// position.
    pub fn insert(&mut self, key: String, value: V)
        requires
            !has_key(old(self)@, key@),
        ensures
            final(self)@ == sorted_insert(old(self)@, key@, value),
    {
        proof {
            use_type_invariant(&*self);
        }
        let mut p: usize = 0;
        assert(self@.skip(0) =~= self@);
        while p < self.entries.len() && !str_less(key.as_str(), self.entries[p].0.as_str())
            invariant
                p <= self@.len(),
                self@.len() == self.entries@.len(),
                insert_position(self@, key@) == p + insert_position(self@.skip(p as int), key@),
            decreases self@.len() - p,
        {
            assert(self@.skip(p as int).drop_first() =~= self@.skip(p + 1));
            assert(self@.skip(p as int)[0] == self@[p as int]);
            p = p + 1;
        }
        proof {
            if p < self@.len() {
                assert(self@.skip(p as int)[0] == self@[p as int]);
            }
            lemma_insert_position(self@, key@, value);
            lemma_sorted_insert(self@, key@, value);
            lemma_map_insert(self.entries@, p as int, key, value);
        }
        let mut es: Vec<(String, V)> = Vec::new();
        std::mem::swap(&mut es, &mut self.entries);
        es.insert(p, (key, value));
        self.entries = es;
    }
}

} // verus!
